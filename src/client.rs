use vstd::prelude::*;

use crate::codec::{decode_step, encode_frame, encoded, is_partial_frame, wanted, Reader, MAX_FRAME_LEN};
use crate::endpoint::Endpoint;

verus! {

/// What the client relay is started with.
#[derive(Debug, Clone, Copy)]
pub struct ClientParams {
    /// The local UDP address to bind.
    pub address: Endpoint,
    /// Seconds without any event after which the connection is closed.
    pub timeout_secs: u64,
    /// The server's stream address.
    pub server: Endpoint,
}

/// The client relay in the abstract: the server it connects to, the decoder
/// state of its connection while one is open, and the last local sender.
pub struct ClientView {
    pub server: Endpoint,
    pub conn: Option<Seq<u8>>,
    pub last_sender: Option<Endpoint>,
}

/// What the client relay asks its event loop to do, in the abstract.
pub enum ClientStep {
    Nothing,
    Close,
    Connect(Endpoint, Seq<u8>),
    Write(Seq<u8>),
    Deliver(Endpoint, Seq<u8>),
}

/// What the client relay asks its event loop to do.
#[derive(Debug)]
pub enum ClientAction {
    /// Nothing to do.
    Nothing,
    /// Drop the stream connection, if there is one; the UDP socket stays.
    Close,
    /// Connect to `server`, then write `frame` and flush. On failure, report
    /// it with `on_send_failed`.
    Connect { server: Endpoint, frame: Vec<u8> },
    /// Write `frame` on the open connection and flush. On failure, report it
    /// with `on_send_failed`.
    Write { frame: Vec<u8> },
    /// Send `payload` as one UDP datagram to `to`. A failure is only logged.
    Deliver { to: Endpoint, payload: Vec<u8> },
}

impl View for ClientAction {
    type V = ClientStep;

    open spec fn view(&self) -> ClientStep {
        match self {
            ClientAction::Nothing => ClientStep::Nothing,
            ClientAction::Close => ClientStep::Close,
            ClientAction::Connect { server, frame } => ClientStep::Connect(*server, frame@),
            ClientAction::Write { frame } => ClientStep::Write(frame@),
            ClientAction::Deliver { to, payload } => ClientStep::Deliver(*to, payload@),
        }
    }
}

/// Whether the abstract relay is consistent: an open connection's decoder
/// stands between reads, and a connection exists only after some local
/// datagram has set the last sender.
pub open spec fn client_wf(s: ClientView) -> bool {
    match s.conn {
        Some(q) => is_partial_frame(q) && s.last_sender is Some,
        None => true,
    }
}

/// The idle timer fired: the connection goes.
pub open spec fn client_on_timeout(s: ClientView) -> (ClientView, ClientStep) {
    (ClientView { conn: None, ..s }, ClientStep::Close)
}

/// A local datagram `p` came from `sender`: it becomes the last sender, and
/// `p` goes to the server as one frame, over a new connection if none is open.
/// A payload too long for a frame closes the connection.
pub open spec fn client_on_local(s: ClientView, sender: Endpoint, p: Seq<u8>) -> (ClientView, ClientStep) {
    let s1 = ClientView { last_sender: Some(sender), ..s };
    if p.len() > MAX_FRAME_LEN {
        (ClientView { conn: None, ..s1 }, ClientStep::Close)
    } else {
        match s.conn {
            None => (ClientView { conn: Some(Seq::empty()), ..s1 }, ClientStep::Connect(s.server, encoded(p))),
            Some(_) => (s1, ClientStep::Write(encoded(p))),
        }
    }
}

/// Connecting or writing failed: the connection goes; the next datagram
/// connects afresh.
pub open spec fn client_on_send_failed(s: ClientView) -> (ClientView, ClientStep) {
    (ClientView { conn: None, ..s }, ClientStep::Close)
}

/// Bytes `d` came from the server: a frame that they complete goes to the last
/// sender as one datagram.
pub open spec fn client_on_stream_data(s: ClientView, d: Seq<u8>) -> (ClientView, ClientStep) {
    match s.conn {
        None => (s, ClientStep::Nothing),
        Some(q) => {
            let (q2, out) = decode_step(q, d);
            let s1 = ClientView { conn: Some(q2), ..s };
            match out {
                Some(f) => (s1, ClientStep::Deliver(s.last_sender.unwrap(), f)),
                None => (s1, ClientStep::Nothing),
            }
        },
    }
}

/// The server's stream ended or failed: the connection goes.
pub open spec fn client_on_stream_closed(s: ClientView) -> (ClientView, ClientStep) {
    (ClientView { conn: None, ..s }, ClientStep::Close)
}

/// How many bytes the relay takes from the stream in one read: none without a
/// connection.
pub open spec fn client_wanted(s: ClientView) -> int {
    match s.conn {
        Some(q) => wanted(q),
        None => 0,
    }
}

/// The client relay's decisions: a lazily opened stream connection to a fixed
/// server, and the last local sender, to which every datagram from the server goes.
pub struct ClientRelay {
    server: Endpoint,
    conn: Option<Reader>,
    last_sender: Option<Endpoint>,
}

impl View for ClientRelay {
    type V = ClientView;

    closed spec fn view(&self) -> ClientView {
        ClientView {
            server: self.server,
            conn: match self.conn {
                Some(r) => Some(r@),
                None => None,
            },
            last_sender: self.last_sender,
        }
    }
}

impl ClientRelay {
    /// The relay's consistency: its decoder's own, and that of its view.
    pub closed spec fn inv(&self) -> bool {
        &&& match self.conn {
            Some(r) => r.inv(),
            None => true,
        }
        &&& client_wf(self@)
    }

    /// A relay for `server`, with no connection and no sender yet.
    pub fn new(server: Endpoint) -> (r: ClientRelay)
        ensures
            r.inv(),
            r@ == (ClientView { server, conn: None, last_sender: None }),
    {
        ClientRelay { server, conn: None, last_sender: None }
    }

    /// Whether a connection is open.
    pub fn is_connected(&self) -> (r: bool)
        ensures
            r == self@.conn is Some,
    {
        self.conn.is_some()
    }

    /// The most bytes that the next read of the stream may hand over.
    pub fn want(&self) -> (r: usize)
        requires
            self.inv(),
        ensures
            r == client_wanted(self@),
    {
        match &self.conn {
            Some(reader) => reader.want(),
            None => 0,
        }
    }

    /// The idle timer fired.
    pub fn on_timeout(&mut self) -> (r: ClientAction)
        requires
            old(self).inv(),
        ensures
            final(self).inv(),
            (final(self)@, r@) == client_on_timeout(old(self)@),
    {
        self.conn = None;
        ClientAction::Close
    }

    /// A local datagram `payload` came from `sender`.
    pub fn on_local_datagram(&mut self, sender: Endpoint, payload: &[u8]) -> (r: ClientAction)
        requires
            old(self).inv(),
        ensures
            final(self).inv(),
            (final(self)@, r@) == client_on_local(old(self)@, sender, payload@),
    {
        self.last_sender = Some(sender);
        match encode_frame(payload) {
            Ok(frame) => {
                if self.conn.is_some() {
                    ClientAction::Write { frame }
                } else {
                    self.conn = Some(Reader::new());
                    ClientAction::Connect { server: self.server, frame }
                }
            },
            Err(_) => {
                self.conn = None;
                ClientAction::Close
            },
        }
    }

    /// Connecting to the server, or writing to it, failed.
    pub fn on_send_failed(&mut self) -> (r: ClientAction)
        requires
            old(self).inv(),
        ensures
            final(self).inv(),
            (final(self)@, r@) == client_on_send_failed(old(self)@),
    {
        self.conn = None;
        ClientAction::Close
    }

    /// One read of the server's stream delivered `data`.
    pub fn on_stream_data(&mut self, data: &[u8]) -> (r: ClientAction)
        requires
            old(self).inv(),
            data@.len() <= client_wanted(old(self)@),
        ensures
            final(self).inv(),
            (final(self)@, r@) == client_on_stream_data(old(self)@, data@),
    {
        let mut conn: Option<Reader> = None;
        std::mem::swap(&mut conn, &mut self.conn);
        match conn {
            None => ClientAction::Nothing,
            Some(mut reader) => {
                let out = reader.read(data);
                self.conn = Some(reader);
                match out {
                    Some(payload) => match self.last_sender {
                        Some(to) => ClientAction::Deliver { to, payload },
                        None => ClientAction::Nothing,
                    },
                    None => ClientAction::Nothing,
                }
            },
        }
    }

    /// The server's stream ended, or reading it failed.
    pub fn on_stream_closed(&mut self) -> (r: ClientAction)
        requires
            old(self).inv(),
        ensures
            final(self).inv(),
            (final(self)@, r@) == client_on_stream_closed(old(self)@),
    {
        self.conn = None;
        ClientAction::Close
    }
}

/// One event of the client relay's loop, in the abstract.
pub enum ClientEvent {
    Timeout,
    Local(Endpoint, Seq<u8>),
    SendFailed,
    StreamData(Seq<u8>),
    StreamClosed,
}

/// The relay's answer to one event.
pub open spec fn client_step(s: ClientView, e: ClientEvent) -> (ClientView, ClientStep) {
    match e {
        ClientEvent::Timeout => client_on_timeout(s),
        ClientEvent::Local(sender, p) => client_on_local(s, sender, p),
        ClientEvent::SendFailed => client_on_send_failed(s),
        ClientEvent::StreamData(d) => client_on_stream_data(s, d),
        ClientEvent::StreamClosed => client_on_stream_closed(s),
    }
}

/// The actions that the relay asks for over a run of events, in order.
pub open spec fn client_actions(s: ClientView, events: Seq<ClientEvent>) -> Seq<ClientStep>
    decreases events.len(),
{
    if events.len() == 0 {
        Seq::empty()
    } else {
        let (s1, a) = client_step(s, events[0]);
        seq![a] + client_actions(s1, events.drop_first())
    }
}

/// Idle teardown: once the timer fires the connection is gone, and the next
/// local datagram opens a new one to the same server, with a fresh decoder,
/// and sends the datagram over it as one frame.
pub proof fn lemma_timeout_then_reconnect(s: ClientView, sender: Endpoint, p: Seq<u8>)
    requires
        p.len() <= MAX_FRAME_LEN,
    ensures
        client_on_timeout(s).0.conn is None,
        client_on_local(client_on_timeout(s).0, sender, p) == (
            ClientView { server: s.server, conn: Some(Seq::empty()), last_sender: Some(sender) },
            ClientStep::Connect(s.server, encoded(p)),
        ),
{
}

/// Every event but a local datagram keeps the last sender, and every datagram
/// from the server goes to the last sender.
proof fn lemma_later_deliveries(s: ClientView, b: Endpoint, events: Seq<ClientEvent>)
    requires
        s.last_sender == Some(b),
        forall|i: int| 0 <= i < events.len() ==> !(#[trigger] events[i] is Local),
    ensures
        client_actions(s, events).len() == events.len(),
        forall|i: int| 0 <= i < events.len() ==> match #[trigger] client_actions(s, events)[i] {
            ClientStep::Deliver(to, _) => to == b,
            _ => true,
        },
    decreases events.len(),
{
    if events.len() > 0 {
        let (s1, a) = client_step(s, events[0]);
        assert(!(events[0] is Local));
        assert(s1.last_sender == Some(b));
        let rest = events.drop_first();
        assert forall|i: int| 0 <= i < rest.len() implies !(#[trigger] rest[i] is Local) by {
            assert(rest[i] == events[i + 1]);
        }
        lemma_later_deliveries(s1, b, rest);
        assert forall|i: int| 0 <= i < events.len() implies match #[trigger] client_actions(s, events)[i] {
            ClientStep::Deliver(to, _) => to == b,
            _ => true,
        } by {
            if i > 0 {
                assert(client_actions(s, events)[i] == client_actions(s1, rest)[i - 1]);
            }
        }
    }
}

/// Routing to the latest sender: after datagrams from `a` and then from `b`,
/// every datagram from the server goes to `b`, never to `a`, for as long as no
/// other local datagram comes, whatever else happens meanwhile.
pub proof fn lemma_replies_go_to_latest_sender(
    s: ClientView,
    a: Endpoint,
    pa: Seq<u8>,
    b: Endpoint,
    pb: Seq<u8>,
    events: Seq<ClientEvent>,
)
    requires
        forall|i: int| 0 <= i < events.len() ==> !(#[trigger] events[i] is Local),
    ensures
        ({
            let s2 = client_on_local(client_on_local(s, a, pa).0, b, pb).0;
            forall|i: int| 0 <= i < events.len() ==> match #[trigger] client_actions(s2, events)[i] {
                ClientStep::Deliver(to, _) => to == b,
                _ => true,
            }
        }),
{
    let s2 = client_on_local(client_on_local(s, a, pa).0, b, pb).0;
    lemma_later_deliveries(s2, b, events);
}

} // verus!
