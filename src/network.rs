use vstd::prelude::*;

pub mod error;
pub mod in_memory;

pub use error::NetworkError;

verus! {

/// The messages the two parties exchange.
#[derive(Debug, Clone)]
pub enum GMWPacket {
    ParameterShares(Vec<bool>),
    And { d: bool, e: bool },
    Result(Vec<bool>),
}

/// A packet as a mathematical value.
pub enum Packet {
    ParameterShares(Seq<bool>),
    And { d: bool, e: bool },
    Result(Seq<bool>),
}

impl View for GMWPacket {
    type V = Packet;

    open spec fn view(&self) -> Packet {
        match self {
            GMWPacket::ParameterShares(v) => Packet::ParameterShares(v@),
            GMWPacket::And { d, e } => Packet::And { d: *d, e: *e },
            GMWPacket::Result(v) => Packet::Result(v@),
        }
    }
}

/// One end of a reliable, in-order, bidirectional packet channel to the other party, with a
/// record of the packets it has sent and received.
pub trait GMWConnection {
    /// The packets sent so far, in order.
    spec fn sent(&self) -> Seq<Packet>;

    /// The packets received so far, in order.
    spec fn received(&self) -> Seq<Packet>;

    /// Sends a packet; a failed send sends nothing.
    fn send(&mut self, message: GMWPacket) -> (r: Result<(), NetworkError>)
        ensures
            final(self).received() == old(self).received(),
            r is Ok ==> final(self).sent() == old(self).sent().push(message@),
            r is Err ==> final(self).sent() == old(self).sent(),
    ;

    /// Waits for the peer's next packet; a failed receive takes nothing.
    fn recv(&mut self) -> (r: Result<GMWPacket, NetworkError>)
        ensures
            final(self).sent() == old(self).sent(),
            r matches Ok(p) ==> final(self).received() == old(self).received().push(p@),
            r is Err ==> final(self).received() == old(self).received(),
    ;

    /// Sends a packet, then waits for the peer's; where the send fails, it does not wait.
    fn exchange(&mut self, message: GMWPacket) -> (r: Result<GMWPacket, NetworkError>)
        ensures
            r matches Ok(p) ==> final(self).sent() == old(self).sent().push(message@)
                && final(self).received() == old(self).received().push(p@),
            r is Err ==> final(self).received() == old(self).received(),
            r is Err ==> final(self).sent() == old(self).sent() || final(self).sent() == old(
                self,
            ).sent().push(message@),
    {
        let ghost m = message@;
        self.send(message)?;
        self.recv()
    }
}

/// A bare packet transport, such as a socket with an encoding, for users to implement; wrap
/// it in a [`Recorded`] to use it as a connection.
pub trait PacketTransport {
    fn send_packet(&mut self, message: GMWPacket) -> Result<(), NetworkError>;

    fn recv_packet(&mut self) -> Result<GMWPacket, NetworkError>;
}

/// A connection over a bare transport, keeping the record of what passed through it.
pub struct Recorded<T: PacketTransport> {
    pub transport: T,
    sent: Ghost<Seq<Packet>>,
    received: Ghost<Seq<Packet>>,
}

impl<T: PacketTransport> Recorded<T> {
    /// The transport it wraps.
    pub closed spec fn spec_transport(&self) -> T {
        self.transport
    }

    pub fn new(transport: T) -> (r: Self)
        ensures
            r.spec_transport() == transport,
            r.sent() == Seq::<Packet>::empty(),
            r.received() == Seq::<Packet>::empty(),
    {
        Recorded { transport, sent: Ghost(Seq::empty()), received: Ghost(Seq::empty()) }
    }
}

impl<T: PacketTransport> GMWConnection for Recorded<T> {
    closed spec fn sent(&self) -> Seq<Packet> {
        self.sent@
    }

    closed spec fn received(&self) -> Seq<Packet> {
        self.received@
    }

    fn send(&mut self, message: GMWPacket) -> (r: Result<(), NetworkError>) {
        let ghost m = message@;
        let r = self.transport.send_packet(message);
        if r.is_ok() {
            self.sent = Ghost(self.sent@.push(m));
        }
        r
    }

    fn recv(&mut self) -> (r: Result<GMWPacket, NetworkError>) {
        let r = self.transport.recv_packet();
        match &r {
            Ok(p) => {
                self.received = Ghost(self.received@.push(p@));
            },
            Err(_) => {},
        }
        r
    }
}

} // verus!
